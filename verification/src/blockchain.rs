use crate::error::AuditError;
use crate::field::FieldElement;
use vstd::prelude::*;

verus! {

/// A serial number with the root recorded under it.
pub type Entry = (FieldElement, FieldElement);

/// Whether the serial numbers of the entries strictly ascend.
pub open spec fn ascending(entries: Seq<Entry>) -> bool {
    forall|i: int, j: int| 0 <= i < j < entries.len() ==> entries[i].0@ < entries[j].0@
}

/// Whether some entry carries the serial number `sn`.
pub open spec fn has_serial(entries: Seq<Entry>, sn: nat) -> bool {
    exists|i: int| 0 <= i < entries.len() && entries[i].0@ == sn
}

/// The position of an entry that carries the serial number `sn`.
pub open spec fn position_of(entries: Seq<Entry>, sn: nat) -> int {
    choose|i: int| 0 <= i < entries.len() && entries[i].0@ == sn
}

/// The entries as a map from serial number to root.
pub open spec fn as_map(entries: Seq<Entry>) -> Map<nat, nat> {
    Map::new(|sn: nat| has_serial(entries, sn), |sn: nat| entries[position_of(entries, sn)].1@)
}

/// In ascending entries, the entry at position `i` is the one that the map
/// holds under its serial number.
pub proof fn lemma_entry_in_map(entries: Seq<Entry>, i: int)
    requires
        ascending(entries),
        0 <= i < entries.len(),
    ensures
        has_serial(entries, entries[i].0@),
        position_of(entries, entries[i].0@) == i,
        as_map(entries).dom().contains(entries[i].0@),
        as_map(entries)[entries[i].0@] == entries[i].1@,
{
    let sn = entries[i].0@;
    assert(has_serial(entries, sn));
    let p = position_of(entries, sn);
    assert(0 <= p < entries.len() && entries[p].0@ == sn);
    if p < i {
        assert(entries[p].0@ < entries[i].0@);
    }
    if i < p {
        assert(entries[i].0@ < entries[p].0@);
    }
}

/// Putting an entry with a new serial number at the place that keeps the
/// serial numbers ascending adds exactly that entry to the map.
pub proof fn lemma_insert_entry(entries: Seq<Entry>, at: int, entry: Entry)
    requires
        ascending(entries),
        0 <= at <= entries.len(),
        forall|i: int| 0 <= i < at ==> entries[i].0@ < entry.0@,
        forall|i: int| at <= i < entries.len() ==> entry.0@ < entries[i].0@,
    ensures
        ascending(entries.insert(at, entry)),
        as_map(entries.insert(at, entry)) == as_map(entries).insert(entry.0@, entry.1@),
{
    let grown = entries.insert(at, entry);
    assert forall|i: int, j: int| 0 <= i < j < grown.len() implies grown[i].0@ < grown[j].0@ by {
        let oi = if i < at { i } else { i - 1 };
        let oj = if j < at { j } else { j - 1 };
        if i != at && j != at {
            assert(entries[oi].0@ < entries[oj].0@);
        }
    }
    let left = as_map(grown);
    let right = as_map(entries).insert(entry.0@, entry.1@);
    assert forall|sn: nat| left.dom().contains(sn) <==> right.dom().contains(sn) by {
        if has_serial(grown, sn) {
            let p = position_of(grown, sn);
            if p < at {
                assert(entries[p].0@ == sn);
            } else if p > at {
                assert(entries[p - 1].0@ == sn);
            }
        }
        if has_serial(entries, sn) {
            let p = position_of(entries, sn);
            if p < at {
                assert(grown[p].0@ == sn);
            } else {
                assert(grown[p + 1].0@ == sn);
            }
        }
        if sn == entry.0@ {
            assert(grown[at].0@ == sn);
        }
    }
    assert forall|sn: nat| left.dom().contains(sn) implies left[sn] == right[sn] by {
        let p = position_of(grown, sn);
        lemma_entry_in_map(grown, p);
        if p < at {
            lemma_entry_in_map(entries, p);
        } else if p > at {
            lemma_entry_in_map(entries, p - 1);
        }
    }
    assert(left =~= right);
}

/// Ascending entries without their last entry hold the same map without the
/// last serial number.
pub proof fn lemma_drop_last_entry(entries: Seq<Entry>)
    requires
        ascending(entries),
        entries.len() > 0,
    ensures
        ascending(entries.drop_last()),
        as_map(entries.drop_last()) == as_map(entries).remove(entries.last().0@),
{
    let shorter = entries.drop_last();
    let left = as_map(shorter);
    let right = as_map(entries).remove(entries.last().0@);
    assert forall|sn: nat| left.dom().contains(sn) <==> right.dom().contains(sn) by {
        if has_serial(shorter, sn) {
            let p = position_of(shorter, sn);
            assert(entries[p].0@ == sn);
            assert(entries[p].0@ < entries[entries.len() - 1].0@);
        }
        if has_serial(entries, sn) && sn != entries.last().0@ {
            let p = position_of(entries, sn);
            assert(shorter[p].0@ == sn);
        }
    }
    assert forall|sn: nat| left.dom().contains(sn) implies left[sn] == right[sn] by {
        let p = position_of(shorter, sn);
        lemma_entry_in_map(shorter, p);
        lemma_entry_in_map(entries, p);
    }
    assert(left =~= right);
}

/// Ascending entries are determined by the map that they hold.
pub proof fn lemma_entries_determined(a: Seq<Entry>, b: Seq<Entry>)
    requires
        ascending(a),
        ascending(b),
        as_map(a) == as_map(b),
    ensures
        a == b,
    decreases a.len(),
{
    if a.len() == 0 {
        if b.len() > 0 {
            lemma_entry_in_map(b, 0);
            assert(as_map(a).dom().contains(b[0].0@));
            assert(false);
        }
        assert(a =~= b);
    } else {
        lemma_entry_in_map(a, a.len() - 1);
        let top = a.last().0@;
        assert(has_serial(b, top));
        let p = position_of(b, top);
        if p < b.len() - 1 {
            lemma_entry_in_map(b, b.len() - 1);
            let higher = b.last().0@;
            assert(has_serial(a, higher));
            let q = position_of(a, higher);
            if q < a.len() - 1 {
                assert(a[q].0@ < a[a.len() - 1].0@);
            }
            assert(b[p].0@ < b[b.len() - 1].0@);
            assert(false);
        }
        lemma_entry_in_map(b, p);
        FieldElement::lemma_view_injective(a.last().0, b.last().0);
        FieldElement::lemma_view_injective(a.last().1, b.last().1);
        lemma_drop_last_entry(a);
        lemma_drop_last_entry(b);
        lemma_entries_determined(a.drop_last(), b.drop_last());
        assert(a =~= a.drop_last().push(a.last()));
        assert(b =~= b.drop_last().push(b.last()));
    }
}

/// The public ledger: a map from serial number to root that only grows and
/// never holds a serial number twice. Its entries are kept in the ascending
/// order of their serial numbers, so that what it hands out depends on its
/// contents alone and not on the order in which they came.
#[derive(Debug)]
pub struct Blockchain {
    inner: Vec<Entry>,
}

impl View for Blockchain {
    type V = Map<nat, nat>;

    /// The root recorded under each serial number.
    open spec fn view(&self) -> Map<nat, nat> {
        as_map(self.entries())
    }
}

impl Blockchain {
    /// The entries in the ascending order of their serial numbers.
    pub closed spec fn entries(&self) -> Seq<Entry> {
        self.inner@
    }

    /// The serial numbers of the entries strictly ascend.
    #[verifier::type_invariant]
    pub open spec fn wf(&self) -> bool {
        ascending(self.entries())
    }

    /// The serial numbers, ascending.
    pub open spec fn keys_spec(&self) -> Seq<FieldElement> {
        self.entries().map_values(|e: Entry| e.0)
    }

    /// The roots, in the ascending order of their serial numbers.
    pub open spec fn values_spec(&self) -> Seq<FieldElement> {
        self.entries().map_values(|e: Entry| e.1)
    }

    /// Blockchains that hold the same map hold the same entries, and so hand
    /// out the same serial numbers and the same roots in the same order,
    /// whatever the order in which their entries came.
    pub proof fn lemma_contents_determine_entries(a: Blockchain, b: Blockchain)
        requires
            a.wf(),
            b.wf(),
            a@ == b@,
        ensures
            a.entries() == b.entries(),
            a.keys_spec() == b.keys_spec(),
            a.values_spec() == b.values_spec(),
    {
        lemma_entries_determined(a.entries(), b.entries());
    }

    /// The serial numbers that the blockchain hands out are those under
    /// which its map holds a root.
    pub proof fn lemma_keys_are_domain(self, sn: nat)
        requires
            self.wf(),
        ensures
            self@.dom().contains(sn) <==> exists|i: int|
                0 <= i < self.keys_spec().len() && (#[trigger] self.keys_spec()[i])@ == sn,
    {
        if self@.dom().contains(sn) {
            let p = position_of(self.entries(), sn);
            assert(self.keys_spec()[p]@ == sn);
        }
        if exists|i: int| 0 <= i < self.keys_spec().len() && (#[trigger] self.keys_spec()[i])@ == sn {
            let i = choose|i: int|
                0 <= i < self.keys_spec().len() && (#[trigger] self.keys_spec()[i])@ == sn;
            assert(self.entries()[i].0@ == sn);
        }
    }

    /// A blockchain without entries.
    pub fn new() -> (chain: Self)
        ensures
            chain@ == Map::<nat, nat>::empty(),
            chain.entries() == Seq::<Entry>::empty(),
            chain.wf(),
    {
        let chain = Blockchain { inner: Vec::new() };
        proof {
            assert(chain@ =~= Map::<nat, nat>::empty());
        }
        chain
    }

    /// The number of entries.
    pub fn len(&self) -> (count: usize)
        ensures
            count == self.entries().len(),
    {
        self.inner.len()
    }

    /// The position of the first entry whose serial number is not below `sn`.
    fn lower_bound(&self, sn: &FieldElement) -> (at: usize)
        ensures
            at <= self.entries().len(),
            forall|i: int| 0 <= i < at ==> self.entries()[i].0@ < sn@,
            forall|i: int| at <= i < self.entries().len() ==> sn@ <= self.entries()[i].0@,
    {
        proof {
            use_type_invariant(self);
        }
        let mut at: usize = 0;
        while at < self.inner.len()
            invariant
                at <= self.inner.len(),
                ascending(self.inner@),
                forall|i: int| 0 <= i < at ==> self.inner@[i].0@ < sn@,
            decreases self.inner.len() - at,
        {
            if !self.inner[at].0.is_less_than(sn) {
                assert forall|i: int| at <= i < self.inner@.len() implies sn@
                    <= self.inner@[i].0@ by {
                    if at < i {
                        assert(self.inner@[at as int].0@ < self.inner@[i].0@);
                    }
                }
                return at;
            }
            at += 1;
        }
        at
    }

    /// Whether the serial number is on the blockchain.
    pub fn contains(&self, serial_number: &FieldElement) -> (found: bool)
        ensures
            found == self@.dom().contains(serial_number@),
    {
        let at = self.lower_bound(serial_number);
        if at < self.inner.len() && self.inner[at].0.is_eq(serial_number) {
            true
        } else {
            proof {
                use_type_invariant(self);
                if has_serial(self.inner@, serial_number@) {
                    let p = position_of(self.inner@, serial_number@);
                    if at < p {
                        assert(self.inner@[at as int].0@ < self.inner@[p].0@);
                    }
                    assert(p == at);
                }
            }
            false
        }
    }

    /// Records the root under the serial number, unless the serial number is
    /// already on the blockchain: that is a double spend, and nothing changes.
    pub fn append_transaction(&mut self, root: FieldElement, serial_number: FieldElement) -> (done:
        Result<(), AuditError>)
        ensures
            final(self).wf(),
            done is Ok <==> !old(self)@.dom().contains(serial_number@),
            done is Ok ==> final(self)@ == old(self)@.insert(serial_number@, root@),
            done matches Err(e) ==> e == AuditError::DuplicateSerialNumber && final(self).entries()
                == old(self).entries(),
    {
        proof {
            use_type_invariant(&*self);
        }
        let at = self.lower_bound(&serial_number);
        if at < self.inner.len() && self.inner[at].0.is_eq(&serial_number) {
            return Err(AuditError::DuplicateSerialNumber);
        }
        proof {
            if has_serial(self.inner@, serial_number@) {
                let p = position_of(self.inner@, serial_number@);
                assert(p == at);
            }
            lemma_insert_entry(self.inner@, at as int, (serial_number, root));
        }
        let mut grown = self.inner();
        grown.insert(at, (serial_number, root));
        self.inner = grown;
        Ok(())
    }

    /// The serial numbers on the blockchain, ascending.
    pub fn keys(&self) -> (keys: Vec<FieldElement>)
        ensures
            keys@ == self.keys_spec(),
    {
        let mut keys: Vec<FieldElement> = Vec::new();
        let mut i: usize = 0;
        while i < self.inner.len()
            invariant
                i <= self.inner.len(),
                keys@ == self.inner@.take(i as int).map_values(|e: Entry| e.0),
            decreases self.inner.len() - i,
        {
            keys.push(self.inner[i].0);
            proof {
                assert(self.inner@.take(i + 1).map_values(|e: Entry| e.0) =~= self.inner@.take(
                    i as int,
                ).map_values(|e: Entry| e.0).push(self.inner@[i as int].0));
            }
            i += 1;
        }
        proof {
            assert(self.inner@.take(self.inner.len() as int) =~= self.inner@);
        }
        keys
    }

    /// The roots on the blockchain, in the ascending order of their serial
    /// numbers.
    pub fn values(&self) -> (values: Vec<FieldElement>)
        ensures
            values@ == self.values_spec(),
    {
        let mut values: Vec<FieldElement> = Vec::new();
        let mut i: usize = 0;
        while i < self.inner.len()
            invariant
                i <= self.inner.len(),
                values@ == self.inner@.take(i as int).map_values(|e: Entry| e.1),
            decreases self.inner.len() - i,
        {
            values.push(self.inner[i].1);
            proof {
                assert(self.inner@.take(i + 1).map_values(|e: Entry| e.1) =~= self.inner@.take(
                    i as int,
                ).map_values(|e: Entry| e.1).push(self.inner@[i as int].1));
            }
            i += 1;
        }
        proof {
            assert(self.inner@.take(self.inner.len() as int) =~= self.inner@);
        }
        values
    }

    /// The entries of the blockchain, ascending by serial number.
    pub fn inner(&self) -> (entries: Vec<Entry>)
        ensures
            entries@ == self.entries(),
    {
        let mut entries: Vec<Entry> = Vec::new();
        let mut i: usize = 0;
        while i < self.inner.len()
            invariant
                i <= self.inner.len(),
                entries@ == self.inner@.take(i as int),
            decreases self.inner.len() - i,
        {
            entries.push(self.inner[i]);
            proof {
                assert(self.inner@.take(i + 1) =~= self.inner@.take(i as int).push(
                    self.inner@[i as int],
                ));
            }
            i += 1;
        }
        proof {
            assert(self.inner@.take(self.inner.len() as int) =~= self.inner@);
        }
        entries
    }
}

impl Clone for Blockchain {
    fn clone(&self) -> (copy: Self)
        ensures
            copy.entries() == self.entries(),
            copy@ == self@,
    {
        proof {
            use_type_invariant(self);
        }
        Blockchain { inner: self.inner() }
    }
}

impl Default for Blockchain {
    fn default() -> (chain: Self)
        ensures
            chain@ == Map::<nat, nat>::empty(),
            chain.entries() == Seq::<Entry>::empty(),
    {
        Blockchain::new()
    }
}

} // verus!
