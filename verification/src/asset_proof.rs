use crate::error::AuditError;
use crate::field::modulus;
use crate::field::FieldElement;
use crate::org::all_contained;
use crate::org::validate_transaction_serial_numbers;
use std::collections::HashMap;
use std::collections::HashSet;
use vstd::arithmetic::div_mod::lemma_mul_mod_noop_right;
use vstd::arithmetic::div_mod::lemma_small_mod;
use vstd::prelude::*;

verus! {

/// The number of times that `item` occurs in `pool`.
pub open spec fn count_of(pool: Seq<u64>, item: u64) -> nat
    decreases pool.len(),
{
    if pool.len() == 0 {
        0
    } else {
        count_of(pool.drop_last(), item) + if pool.last() == item {
            1nat
        } else {
            0nat
        }
    }
}

/// An item occurs at most as often as the pool is long, and at least once
/// exactly where the pool contains it.
pub proof fn lemma_count_of(pool: Seq<u64>, item: u64)
    ensures
        count_of(pool, item) <= pool.len(),
        count_of(pool, item) > 0 <==> pool.contains(item),
    decreases pool.len(),
{
    if pool.len() > 0 {
        lemma_count_of(pool.drop_last(), item);
        if pool.drop_last().contains(item) {
            let i = choose|i: int| 0 <= i < pool.drop_last().len() && pool.drop_last()[i] == item;
            assert(pool[i] == item);
        }
        if pool.contains(item) && pool.last() != item {
            let i = choose|i: int| 0 <= i < pool.len() && pool[i] == item;
            assert(pool.drop_last()[i] == item);
        }
        if pool.last() == item {
            assert(pool[pool.len() - 1] == item);
        }
    }
}

/// Whether the items strictly ascend.
pub open spec fn strictly_ascending(items: Seq<u64>) -> bool {
    forall|i: int, j: int| 0 <= i < j < items.len() ==> items[i] < items[j]
}

/// Whether two sequences hold the same items, however often and in whatever
/// order.
pub open spec fn same_items(a: Seq<u64>, b: Seq<u64>) -> bool {
    forall|x: u64| a.contains(x) <==> b.contains(x)
}

/// The distinct serial numbers of a sequence in their canonical order: the
/// strictly ascending sequence that holds the same items.
pub open spec fn canonical_serials(serials: Seq<u64>) -> Seq<u64> {
    choose|distinct: Seq<u64>| strictly_ascending(distinct) && same_items(distinct, serials)
}

/// There is one strictly ascending sequence for each set of items.
pub proof fn lemma_canonical_unique(a: Seq<u64>, b: Seq<u64>)
    requires
        strictly_ascending(a),
        strictly_ascending(b),
        same_items(a, b),
    ensures
        a == b,
    decreases a.len(),
{
    if a.len() == 0 {
        if b.len() > 0 {
            assert(b.contains(b[0]));
            assert(a.contains(b[0]));
        }
        assert(a =~= b);
    } else {
        let top = a.last();
        assert(a.contains(a[a.len() - 1]));
        assert(b.contains(top));
        let p = choose|p: int| 0 <= p < b.len() && b[p] == top;
        if p < b.len() - 1 {
            let higher = b[b.len() - 1];
            assert(b.contains(b[b.len() - 1]));
            assert(a.contains(higher));
            let q = choose|q: int| 0 <= q < a.len() && a[q] == higher;
            if q < a.len() - 1 {
                assert(a[q] < a[a.len() - 1]);
            }
            assert(b[p] < b[b.len() - 1]);
            assert(false);
        }
        let a0 = a.drop_last();
        let b0 = b.drop_last();
        assert forall|x: u64| a0.contains(x) <==> b0.contains(x) by {
            if a0.contains(x) {
                let i = choose|i: int| 0 <= i < a0.len() && a0[i] == x;
                assert(a[i] < a[a.len() - 1]);
                assert(a.contains(a[i]));
                assert(b.contains(x));
                let j = choose|j: int| 0 <= j < b.len() && b[j] == x;
                assert(b0[j] == x);
            }
            if b0.contains(x) {
                let j = choose|j: int| 0 <= j < b0.len() && b0[j] == x;
                assert(b[j] < b[b.len() - 1]);
                assert(b.contains(b[j]));
                assert(a.contains(x));
                let i = choose|i: int| 0 <= i < a.len() && a[i] == x;
                assert(a0[i] == x);
            }
        }
        lemma_canonical_unique(a0, b0);
        assert(a =~= a0.push(top));
        assert(b =~= b0.push(top));
    }
}

/// For each of the serial numbers that occurs in the pool, in order, the
/// number of times that it occurs there.
pub open spec fn counts_along(serials: Seq<u64>, pool: Seq<u64>) -> Seq<u32>
    decreases serials.len(),
{
    if serials.len() == 0 {
        Seq::empty()
    } else {
        let before = counts_along(serials.drop_last(), pool);
        let count = count_of(pool, serials.last());
        if count > 0 {
            before.push(count as u32)
        } else {
            before
        }
    }
}

/// The occurrence vector of the secret serial numbers against the public
/// ones: for each distinct secret serial number that is public, in canonical
/// order, the number of times that it occurs among the public ones.
pub open spec fn occurrence_vector_spec(public_vector: Seq<u64>, secret_vector: Seq<u64>) -> Seq<
    u32,
> {
    counts_along(canonical_serials(secret_vector), public_vector)
}

/// Counts, for each public serial number that is also secret, how often it
/// occurs among the public ones.
pub fn count_occurrences(public_vector: Vec<u64>, secret_vector: Vec<u64>) -> (counts: HashMap<
    u64,
    u32,
>)
    requires
        public_vector.len() <= u32::MAX,
    ensures
        forall|x: u64| #[trigger]
            counts@.contains_key(x) <==> public_vector@.contains(x) && secret_vector@.contains(x),
        forall|x: u64| #[trigger]
            counts@.contains_key(x) ==> counts@[x] == count_of(public_vector@, x),
{
    let mut set2: HashSet<u64> = HashSet::new();
    let mut k: usize = 0;
    while k < secret_vector.len()
        invariant
            k <= secret_vector.len(),
            forall|x: u64| #[trigger]
                set2@.contains(x) <==> secret_vector@.take(k as int).contains(x),
        decreases secret_vector.len() - k,
    {
        let item = secret_vector[k];
        let ghost old_set = set2@;
        set2.insert(item);
        proof {
            let before = secret_vector@.take(k as int);
            let after = secret_vector@.take(k + 1);
            assert(after =~= before.push(item));
            assert(set2@ == old_set.insert(item));
            assert forall|x: u64| #[trigger] set2@.contains(x) <==> after.contains(x) by {
                assert(old_set.contains(x) <==> before.contains(x));
                if before.contains(x) {
                    let i = choose|i: int| 0 <= i < before.len() && before[i] == x;
                    assert(after[i] == x);
                }
                if after.contains(x) && x != item {
                    let i = choose|i: int| 0 <= i < after.len() && after[i] == x;
                    assert(before[i] == x);
                }
                assert(after[k as int] == item);
            }
        }
        k += 1;
    }
    proof {
        assert(secret_vector@.take(secret_vector.len() as int) =~= secret_vector@);
    }
    let mut counts: HashMap<u64, u32> = HashMap::new();
    let mut i: usize = 0;
    while i < public_vector.len()
        invariant
            i <= public_vector.len(),
            public_vector.len() <= u32::MAX,
            forall|x: u64| #[trigger] set2@.contains(x) <==> secret_vector@.contains(x),
            forall|x: u64| #[trigger]
                counts@.contains_key(x) <==> public_vector@.take(i as int).contains(x)
                    && secret_vector@.contains(x),
            forall|x: u64| #[trigger]
                counts@.contains_key(x) ==> counts@[x] == count_of(public_vector@.take(i as int), x),
        decreases public_vector.len() - i,
    {
        let item = public_vector[i];
        let ghost before = public_vector@.take(i as int);
        let ghost after = public_vector@.take(i + 1);
        let ghost old_counts = counts@;
        proof {
            assert(after.drop_last() =~= before);
            assert(after.last() == item);
            lemma_count_of(before, item);
            assert(old_counts.contains_key(item) <==> before.contains(item)
                && secret_vector@.contains(item));
            assert(set2@.contains(item) <==> secret_vector@.contains(item));
        }
        if set2.contains(&item) {
            let seen: u32 = match counts.get(&item) {
                Some(count) => *count,
                None => 0,
            };
            counts.insert(item, seen + 1);
            proof {
                assert(counts@ == old_counts.insert(item, (seen + 1) as u32));
                assert(seen == count_of(before, item));
            }
        }
        proof {
            assert forall|x: u64| #[trigger]
                counts@.contains_key(x) <==> after.contains(x) && secret_vector@.contains(x) by {
                assert(old_counts.contains_key(x) <==> before.contains(x)
                    && secret_vector@.contains(x));
                if before.contains(x) {
                    let j = choose|j: int| 0 <= j < before.len() && before[j] == x;
                    assert(after[j] == x);
                }
                if after.contains(x) && x != item {
                    let j = choose|j: int| 0 <= j < after.len() && after[j] == x;
                    assert(before[j] == x);
                }
                assert(after[i as int] == item);
            }
            assert forall|x: u64| #[trigger] counts@.contains_key(x) implies counts@[x]
                == count_of(after, x) by {
                if x != item {
                    assert(old_counts.contains_key(x));
                }
            }
        }
        i += 1;
    }
    proof {
        assert(public_vector@.take(public_vector.len() as int) =~= public_vector@);
    }
    counts
}

/// In the field, a number times the quotient of a numerator by that number is
/// the numerator again.
pub proof fn lemma_reciprocal_identity(num: int, numerator: int, inverse: int, p: int)
    requires
        p > 1,
        0 <= numerator < p,
        (num * inverse) % p == 1,
    ensures
        (num * ((numerator * inverse) % p)) % p == numerator,
{
    lemma_mul_mod_noop_right(num, numerator * inverse, p);
    assert(num * (numerator * inverse) == numerator * (num * inverse)) by (nonlinear_arith);
    lemma_mul_mod_noop_right(numerator, num * inverse, p);
    assert(numerator * 1 == numerator);
    lemma_small_mod(numerator as nat, p as nat);
}

/// Checks the reciprocal identity `num * (numerator / num) == numerator` in
/// the field, with an explicit inverse. It holds for every `num` but zero,
/// which has no inverse. The numerator is handed back with the answer.
pub fn check_general_reciprocal(num: &FieldElement, numerator: &FieldElement) -> (checked: (
    bool,
    FieldElement,
))
    ensures
        checked.0 == (num@ != 0),
        checked.1 == *numerator,
{
    match num.inverse() {
        None => (false, *numerator),
        Some(inverse) => {
            let reciprocal = numerator.times(&inverse);
            let result = num.times(&reciprocal);
            proof {
                use_type_invariant(numerator);
                lemma_reciprocal_identity(
                    num@ as int,
                    numerator@ as int,
                    inverse@ as int,
                    modulus() as int,
                );
            }
            (result.is_eq(numerator), *numerator)
        },
    }
}

/// The position of the first item that is not below `item`.
fn lower_bound(items: &Vec<u64>, item: u64) -> (at: usize)
    requires
        strictly_ascending(items@),
    ensures
        at <= items.len(),
        forall|i: int| 0 <= i < at ==> items@[i] < item,
        forall|i: int| at <= i < items.len() ==> item <= items@[i],
{
    let mut at: usize = 0;
    while at < items.len()
        invariant
            at <= items.len(),
            strictly_ascending(items@),
            forall|i: int| 0 <= i < at ==> items@[i] < item,
        decreases items.len() - at,
    {
        if items[at] >= item {
            assert forall|i: int| at <= i < items.len() implies item <= items@[i] by {
                if at < i {
                    assert(items@[at as int] < items@[i]);
                }
            }
            return at;
        }
        at += 1;
    }
    at
}

/// The distinct serial numbers in canonical order.
pub fn distinct_sorted(serials: &Vec<u64>) -> (distinct: Vec<u64>)
    ensures
        strictly_ascending(distinct@),
        same_items(distinct@, serials@),
        distinct@ == canonical_serials(serials@),
{
    let mut distinct: Vec<u64> = Vec::new();
    let mut k: usize = 0;
    while k < serials.len()
        invariant
            k <= serials.len(),
            strictly_ascending(distinct@),
            same_items(distinct@, serials@.take(k as int)),
        decreases serials.len() - k,
    {
        let item = serials[k];
        let at = lower_bound(&distinct, item);
        let ghost before = distinct@;
        let ghost seen = serials@.take(k as int);
        let ghost now = serials@.take(k + 1);
        let present = at < distinct.len() && distinct[at] == item;
        if !present {
            distinct.insert(at, item);
        }
        proof {
            assert(now =~= seen.push(item));
            assert(now[k as int] == item);
            if present {
                assert(before.contains(before[at as int]));
            } else {
                assert(distinct@[at as int] == item);
                assert forall|i: int, j: int| 0 <= i < j < distinct@.len() implies distinct@[i]
                    < distinct@[j] by {
                    let oi = if i < at { i } else { i - 1 };
                    let oj = if j < at { j } else { j - 1 };
                    if i != at && j != at {
                        assert(before[oi] < before[oj]);
                    }
                }
            }
            assert forall|x: u64| distinct@.contains(x) <==> now.contains(x) by {
                if distinct@.contains(x) && x != item {
                    let i = choose|i: int| 0 <= i < distinct@.len() && distinct@[i] == x;
                    if present {
                        assert(before.contains(x));
                    } else {
                        let oi = if i < at { i } else { i - 1 };
                        assert(before[oi] == x);
                        assert(before.contains(x));
                    }
                    assert(seen.contains(x));
                    let j = choose|j: int| 0 <= j < seen.len() && seen[j] == x;
                    assert(now[j] == x);
                }
                if now.contains(x) && x != item {
                    let j = choose|j: int| 0 <= j < now.len() && now[j] == x;
                    assert(seen[j] == x);
                    assert(before.contains(x));
                    let i = choose|i: int| 0 <= i < before.len() && before[i] == x;
                    if !present {
                        let ni = if i < at { i } else { i + 1 };
                        assert(distinct@[ni] == x);
                    }
                }
                if x == item {
                    assert(distinct@[at as int] == item);
                }
            }
        }
        k += 1;
    }
    proof {
        assert(serials@.take(serials.len() as int) =~= serials@);
        let chosen = canonical_serials(serials@);
        assert(strictly_ascending(chosen) && same_items(chosen, serials@));
        lemma_canonical_unique(distinct@, chosen);
    }
    distinct
}

/// The occurrence vector of the secret serial numbers against the public
/// ones, in the canonical order of the distinct secret serial numbers.
pub fn occurrence_vector(public_vector: &Vec<u64>, secret_vector: &Vec<u64>) -> (vector: Vec<u32>)
    requires
        public_vector.len() <= u32::MAX,
    ensures
        vector@ == occurrence_vector_spec(public_vector@, secret_vector@),
{
    let counts = count_occurrences(public_vector.clone(), secret_vector.clone());
    let distinct = distinct_sorted(secret_vector);
    let mut vector: Vec<u32> = Vec::new();
    let mut i: usize = 0;
    while i < distinct.len()
        invariant
            i <= distinct.len(),
            same_items(distinct@, secret_vector@),
            forall|x: u64| #[trigger]
                counts@.contains_key(x) <==> public_vector@.contains(x)
                    && secret_vector@.contains(x),
            forall|x: u64| #[trigger]
                counts@.contains_key(x) ==> counts@[x] == count_of(public_vector@, x),
            vector@ == counts_along(distinct@.take(i as int), public_vector@),
        decreases distinct.len() - i,
    {
        let serial = distinct[i];
        proof {
            assert(distinct@.take(i + 1).drop_last() =~= distinct@.take(i as int));
            assert(distinct@.contains(distinct@[i as int]));
            assert(secret_vector@.contains(serial));
            assert(counts@.contains_key(serial) <==> public_vector@.contains(serial));
            lemma_count_of(public_vector@, serial);
        }
        match counts.get(&serial) {
            Some(count) => {
                vector.push(*count);
            },
            None => {},
        }
        i += 1;
    }
    proof {
        assert(distinct@.take(distinct.len() as int) =~= distinct@);
    }
    vector
}

/// Whether two vectors of counts are equal.
fn same_counts(a: &Vec<u32>, b: &Vec<u32>) -> (same: bool)
    ensures
        same == (a@ == b@),
{
    if a.len() != b.len() {
        return false;
    }
    let mut i: usize = 0;
    while i < a.len()
        invariant
            i <= a.len(),
            a.len() == b.len(),
            forall|j: int| 0 <= j < i ==> a@[j] == b@[j],
        decreases a.len() - i,
    {
        if a[i] != b[i] {
            return false;
        }
        i += 1;
    }
    proof {
        assert(a@ =~= b@);
    }
    true
}

/// The statement that an organization's spent serial numbers are sound
/// against the blockchain: each is on the blockchain, the reciprocal identity
/// holds for each at the challenge `alpha`, and the claimed occurrence vector
/// is the counted one.
#[derive(Debug)]
pub struct AssetProof {
    pub alpha: u32,
    pub expected_occurrence_vector: Vec<u32>,
    pub spent_serial_numbers: Vec<u64>,
    pub blockchain_sns: Vec<u64>,
}

impl AssetProof {
    pub fn new(
        alpha: u32,
        expected_occurrence_vector: Vec<u32>,
        blockchain_sns: Vec<u64>,
        public_spent_serial_numbers: Vec<u64>,
    ) -> (statement: Self)
        ensures
            statement.alpha == alpha,
            statement.expected_occurrence_vector == expected_occurrence_vector,
            statement.blockchain_sns == blockchain_sns,
            statement.spent_serial_numbers == public_spent_serial_numbers,
    {
        AssetProof {
            alpha,
            expected_occurrence_vector,
            blockchain_sns,
            spent_serial_numbers: public_spent_serial_numbers,
        }
    }

    /// Whether some spent serial number plus the challenge is zero, so that
    /// the sum has no reciprocal in the field. A serial number is below 2^64
    /// and the challenge below 2^32, so their sum is zero in the field only
    /// where both are zero.
    pub open spec fn zero_denominator(&self) -> bool {
        self.alpha == 0 && self.spent_serial_numbers@.contains(0)
    }

    /// What checking the statement gives: the first of its three conditions
    /// that fails, or success.
    pub open spec fn verdict(&self) -> Result<(), AuditError> {
        if !all_contained(self.spent_serial_numbers@, self.blockchain_sns@) {
            Err(AuditError::SubsetViolation)
        } else if self.zero_denominator() {
            Err(AuditError::ProofFailure)
        } else if occurrence_vector_spec(self.blockchain_sns@, self.spent_serial_numbers@)
            != self.expected_occurrence_vector@ {
            Err(AuditError::OccurrenceMismatch)
        } else {
            Ok(())
        }
    }

    /// Checks the statement on the witness.
    pub fn generate_constraints(self) -> (done: Result<(), AuditError>)
        requires
            self.blockchain_sns.len() <= u32::MAX,
        ensures
            done == self.verdict(),
    {
        if !validate_transaction_serial_numbers(
            self.blockchain_sns.clone(),
            self.spent_serial_numbers.clone(),
        ) {
            return Err(AuditError::SubsetViolation);
        }
        let counts = count_occurrences(
            self.blockchain_sns.clone(),
            self.spent_serial_numbers.clone(),
        );
        let unique_public_set = distinct_sorted(&self.spent_serial_numbers);
        let mut actual_counts: Vec<u32> = Vec::new();
        let mut index: usize = 0;
        while index < unique_public_set.len()
            invariant
                index <= unique_public_set.len(),
                all_contained(self.spent_serial_numbers@, self.blockchain_sns@),
                same_items(unique_public_set@, self.spent_serial_numbers@),
                forall|x: u64| #[trigger]
                    counts@.contains_key(x) <==> self.blockchain_sns@.contains(x)
                        && self.spent_serial_numbers@.contains(x),
                forall|x: u64| #[trigger]
                    counts@.contains_key(x) ==> counts@[x] == count_of(self.blockchain_sns@, x),
                actual_counts@ == counts_along(
                    unique_public_set@.take(index as int),
                    self.blockchain_sns@,
                ),
                forall|j: int|
                    0 <= j < index ==> !(self.alpha == 0 && #[trigger] unique_public_set@[j] == 0),
            decreases unique_public_set.len() - index,
        {
            let serial = unique_public_set[index];
            proof {
                assert(unique_public_set@.take(index + 1).drop_last() =~= unique_public_set@.take(
                    index as int,
                ));
                assert(unique_public_set@.contains(unique_public_set@[index as int]));
                assert(self.spent_serial_numbers@.contains(serial));
                assert(counts@.contains_key(serial) <==> self.blockchain_sns@.contains(serial));
                lemma_count_of(self.blockchain_sns@, serial);
            }
            let denominator = FieldElement::from_u128(serial as u128 + self.alpha as u128);
            match counts.get(&serial) {
                Some(count) => {
                    let numerator = FieldElement::from_u64(*count as u64);
                    let (check, _) = check_general_reciprocal(&denominator, &numerator);
                    if !check {
                        return Err(AuditError::ProofFailure);
                    }
                    actual_counts.push(*count);
                },
                None => {
                    proof {
                        let at = choose|at: int|
                            0 <= at < self.spent_serial_numbers@.len()
                                && self.spent_serial_numbers@[at] == serial;
                        assert(self.blockchain_sns@.contains(self.spent_serial_numbers@[at]));
                    }
                },
            }
            index += 1;
        }
        proof {
            assert(unique_public_set@.take(unique_public_set.len() as int) =~= unique_public_set@);
            if self.zero_denominator() {
                assert(unique_public_set@.contains(0));
                let j = choose|j: int|
                    0 <= j < unique_public_set@.len() && unique_public_set@[j] == 0;
                assert(!(self.alpha == 0 && unique_public_set@[j] == 0));
            }
        }
        if !same_counts(&actual_counts, &self.expected_occurrence_vector) {
            return Err(AuditError::OccurrenceMismatch);
        }
        Ok(())
    }
}

} // verus!
