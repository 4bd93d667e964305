//! Account balances: a map from address to a signed amount, kept as two
//! parallel vectors in which no address occurs twice.

use vstd::prelude::*;

verus! {

/// The balance of an address in a map of balances; 0 when it has none.
pub open spec fn balance_of(m: Map<Seq<char>, i64>, address: Seq<char>) -> int {
    if m.contains_key(address) {
        m[address] as int
    } else {
        0
    }
}

/// Whether adding `amount` to the balance of `address` stays within `i64`.
pub open spec fn credit_fits(m: Map<Seq<char>, i64>, address: Seq<char>, amount: i64) -> bool {
    i64::MIN <= balance_of(m, address) + amount <= i64::MAX
}

/// The balances after adding `amount` to the balance of `address`, which is
/// entered with balance 0 first when it has none.
pub open spec fn credited(m: Map<Seq<char>, i64>, address: Seq<char>, amount: i64) -> Map<
    Seq<char>,
    i64,
> {
    m.insert(address, (balance_of(m, address) + amount) as i64)
}

/// The sum of a sequence of amounts.
pub open spec fn sum_amounts(amounts: Seq<i64>) -> int
    decreases amounts.len(),
{
    if amounts.len() == 0 {
        0
    } else {
        sum_amounts(amounts.drop_last()) + amounts.last()
    }
}

/// Replacing one amount changes the sum by the difference.
proof fn lemma_sum_update(amounts: Seq<i64>, i: int, amount: i64)
    requires
        0 <= i < amounts.len(),
    ensures
        sum_amounts(amounts.update(i, amount)) == sum_amounts(amounts) - amounts[i] + amount,
    decreases amounts.len(),
{
    let updated = amounts.update(i, amount);
    if i < amounts.len() - 1 {
        assert(updated.drop_last() =~= amounts.drop_last().update(i, amount));
        lemma_sum_update(amounts.drop_last(), i, amount);
    } else {
        assert(updated.drop_last() =~= amounts.drop_last());
    }
}

/// Balances by address.
#[derive(Debug)]
pub struct Balances {
    addresses: Vec<String>,
    amounts: Vec<i64>,
}

impl View for Balances {
    type V = Map<Seq<char>, i64>;

    /// The balances as a map.
    closed spec fn view(&self) -> Map<Seq<char>, i64> {
        Map::new(
            |address: Seq<char>|
                exists|i: int| 0 <= i < self.addresses.len() && self.addresses@[i]@ == address,
            |address: Seq<char>| self.amounts@[self.position(address)],
        )
    }
}

impl Clone for Balances {
    fn clone(&self) -> (copy: Self)
        ensures
            copy.view() == self.view(),
    {
        proof {
            use_type_invariant(self);
        }
        let addresses = self.addresses.clone();
        let amounts = self.amounts.clone();
        assert forall|i: int| 0 <= i < addresses@.len() implies addresses@[i] == self.addresses@[i] by {
            assert(cloned::<String>(self.addresses[i], addresses[i]));
        }
        assert(addresses@ =~= self.addresses@);
        assert(amounts@ =~= self.amounts@);
        let copy = Balances { addresses, amounts };
        assert(copy.view() =~= self.view());
        copy
    }
}

impl Balances {
    /// No address occurs twice, and each has an amount.
    #[verifier::type_invariant]
    spec fn wf(self) -> bool {
        &&& self.addresses.len() == self.amounts.len()
        &&& forall|i: int, j: int|
            0 <= i < self.addresses.len() && 0 <= j < self.addresses.len() && i != j
                ==> self.addresses@[i]@ != self.addresses@[j]@
    }

    /// The sum of all balances.
    pub closed spec fn total(self) -> int {
        sum_amounts(self.amounts@)
    }

    /// The position of an address, if it is present.
    closed spec fn position(self, address: Seq<char>) -> int {
        choose|i: int| 0 <= i < self.addresses.len() && self.addresses@[i]@ == address
    }

    /// An address found at position `i` has the amount at `i`.
    proof fn lemma_at(self, i: int)
        requires
            self.wf(),
            0 <= i < self.addresses.len(),
        ensures
            self.view().contains_key(self.addresses@[i]@),
            self.view()[self.addresses@[i]@] == self.amounts@[i],
    {
        let a = self.addresses@[i]@;
        assert(self.view().contains_key(a));
        let p = self.position(a);
        assert(0 <= p < self.addresses.len() && self.addresses@[p]@ == a);
    }

    /// No balances.
    pub fn new() -> (balances: Balances)
        ensures
            balances.view() == Map::<Seq<char>, i64>::empty(),
    {
        let balances = Balances { addresses: Vec::new(), amounts: Vec::new() };
        assert(balances.view() =~= Map::<Seq<char>, i64>::empty());
        balances
    }

    /// The position of an address, or `None` when it has no balance.
    fn find(&self, address: &String) -> (found: Option<usize>)
        requires
            self.wf(),
        ensures
            found matches Some(i) ==> i < self.addresses.len() && self.addresses@[i as int]@
                == address@ && self.view().contains_key(address@) && self.view()[address@]
                == self.amounts@[i as int],
            found is None <==> !self.view().contains_key(address@),
    {
        let count = self.addresses.len();
        let mut i: usize = 0;
        while i < count
            invariant
                self.wf(),
                count == self.addresses.len(),
                i <= count,
                forall|j: int| 0 <= j < i ==> self.addresses@[j]@ != address@,
            decreases count - i,
        {
            if self.addresses[i] == *address {
                proof {
                    self.lemma_at(i as int);
                }
                return Some(i);
            }
            i += 1;
        }
        None
    }

    /// The balance of an address, if it has one.
    pub fn get(&self, address: &String) -> (amount: Option<i64>)
        ensures
            amount is None <==> !self.view().contains_key(address@),
            amount matches Some(v) ==> self.view()[address@] == v,
    {
        proof {
            use_type_invariant(self);
        }
        match self.find(address) {
            Some(i) => Some(self.amounts[i]),
            None => None,
        }
    }

    /// Sets the balance of an address, replacing the one it had.
    pub fn insert(&mut self, address: String, amount: i64)
        ensures
            final(self).view() == old(self).view().insert(address@, amount),
            final(self).total() == old(self).total() - balance_of(old(self).view(), address@) + amount,
    {
        proof {
            use_type_invariant(&*self);
        }
        let ghost before = self.view();
        let ghost key = address@;
        let found = self.find(&address);
        let mut taken = Balances::new();
        std::mem::swap(self, &mut taken);
        proof {
            use_type_invariant(&taken);
        }
        let ghost old_self = taken;
        let Balances { mut addresses, mut amounts } = taken;
        let ghost old_addresses = addresses@;
        let ghost old_amounts = amounts@;
        match found {
            Some(i) => {
                amounts.set(i, amount);
                proof {
                    lemma_sum_update(old_amounts, i as int, amount);
                    old_self.lemma_at(i as int);
                }
            },
            None => {
                proof {
                    assert forall|j: int| 0 <= j < old_addresses.len() implies old_addresses[j]@ != key by {
                        old_self.lemma_at(j);
                    }
                }
                addresses.push(address);
                amounts.push(amount);
                proof {
                    assert(amounts@.drop_last() =~= old_amounts);
                }
            },
        }
        *self = Balances { addresses, amounts };
        proof {
            use_type_invariant(&*self);
            match found {
                Some(i) => {
                    assert forall|k: Seq<char>| #[trigger] self.view().contains_key(k) <==> before.insert(key, amount).contains_key(k) by {
                        if before.contains_key(k) {
                            let p = old_self.position(k);
                            assert(self.addresses@[p]@ == k);
                        }
                        if self.view().contains_key(k) {
                            let p = self.position(k);
                            assert(old_addresses[p]@ == k);
                        }
                    }
                    assert forall|k: Seq<char>| #[trigger] self.view().contains_key(k) implies self.view()[k] == before.insert(key, amount)[k] by {
                        let p = self.position(k);
                        self.lemma_at(p);
                        if k != key {
                            assert(p != i);
                            old_self.lemma_at(p);
                        }
                    }
                    assert(self.view() =~= before.insert(key, amount));
                },
                None => {
                    let n = old_addresses.len() as int;
                    assert(self.addresses@[n]@ == key);
                    assert forall|k: Seq<char>| #[trigger] self.view().contains_key(k) <==> before.insert(key, amount).contains_key(k) by {
                        if k != key && self.view().contains_key(k) {
                            let p = self.position(k);
                            assert(old_addresses[p]@ == k);
                        }
                        if k != key && before.contains_key(k) {
                            let p = old_self.position(k);
                            assert(self.addresses@[p]@ == k);
                        }
                    }
                    assert forall|k: Seq<char>| #[trigger] self.view().contains_key(k) implies self.view()[k] == before.insert(key, amount)[k] by {
                        let p = self.position(k);
                        self.lemma_at(p);
                        if k != key {
                            assert(old_addresses[p]@ == k);
                            old_self.lemma_at(p);
                        }
                    }
                    assert(self.view() =~= before.insert(key, amount));
                },
            }
        }
    }

    /// Adds `amount` to the balance of `address`, entering it with balance 0
    /// first when it has none.
    pub fn credit(&mut self, address: &String, amount: i64)
        requires
            credit_fits(old(self).view(), address@, amount),
        ensures
            final(self).view() == credited(old(self).view(), address@, amount),
            final(self).total() == old(self).total() + amount,
    {
        let current = match self.get(address) {
            Some(v) => v,
            None => 0,
        };
        self.insert(address.clone(), current + amount);
    }

    /// Adds `amount` to the balance of `address` when the sum stays within
    /// `i64` (entering the address with balance 0 first when it has none),
    /// and returns whether it did; otherwise changes nothing.
    pub fn try_credit(&mut self, address: &String, amount: i64) -> (ok: bool)
        ensures
            ok == credit_fits(old(self).view(), address@, amount),
            ok ==> final(self).view() == credited(old(self).view(), address@, amount),
            !ok ==> final(self).view() == old(self).view(),
    {
        let current = match self.get(address) {
            Some(v) => v,
            None => 0,
        };
        match current.checked_add(amount) {
            Some(total) => {
                self.insert(address.clone(), total);
                true
            },
            None => false,
        }
    }

    /// Whether both hold the same balances for the same addresses.
    pub fn same_as(&self, other: &Balances) -> (same: bool)
        ensures
            same == (self.view() == other.view()),
    {
        proof {
            use_type_invariant(self);
            use_type_invariant(other);
        }
        let count = self.addresses.len();
        let mut i: usize = 0;
        while i < count
            invariant
                self.wf(),
                other.wf(),
                count == self.addresses.len(),
                self.addresses.len() == self.amounts.len(),
                i <= count,
                forall|j: int|
                    0 <= j < i ==> #[trigger] other.view().contains_key(self.addresses@[j]@)
                        && other.view()[self.addresses@[j]@] == self.amounts@[j],
            decreases count - i,
        {
            match other.get(&self.addresses[i]) {
                Some(v) => {
                    if v != self.amounts[i] {
                        proof {
                            self.lemma_at(i as int);
                        }
                        return false;
                    }
                },
                None => {
                    proof {
                        self.lemma_at(i as int);
                    }
                    return false;
                },
            }
            assert forall|j: int|
                0 <= j < i + 1 implies #[trigger] other.view().contains_key(self.addresses@[j]@)
                    && other.view()[self.addresses@[j]@] == self.amounts@[j] by {
                if j < i {
                    assert(other.view().contains_key(self.addresses@[j]@));
                }
            }
            i += 1;
        }
        let other_count = other.addresses.len();
        let mut j: usize = 0;
        while j < other_count
            invariant
                self.wf(),
                other.wf(),
                other_count == other.addresses.len(),
                j <= other_count,
                forall|k: int|
                    0 <= k < j ==> #[trigger] self.view().contains_key(other.addresses@[k]@),
            decreases other_count - j,
        {
            if self.find(&other.addresses[j]).is_none() {
                proof {
                    other.lemma_at(j as int);
                }
                return false;
            }
            j += 1;
        }
        proof {
            assert forall|k: Seq<char>| #[trigger] self.view().contains_key(k) implies other.view().contains_key(k)
                && other.view()[k] == self.view()[k] by {
                let p = self.position(k);
                self.lemma_at(p);
            }
            assert forall|k: Seq<char>| #[trigger] other.view().contains_key(k) implies self.view().contains_key(k) by {
                let p = other.position(k);
                other.lemma_at(p);
            }
            assert(self.view() =~= other.view());
        }
        true
    }

    /// Number of addresses with a balance.
    pub closed spec fn size(self) -> nat {
        self.addresses@.len()
    }

    /// The address stored at position `i`.
    pub closed spec fn address_at(self, i: int) -> Seq<char> {
        self.addresses@[i]@
    }

    /// Number of addresses with a balance; positions below it enumerate them.
    pub fn len(&self) -> (n: usize)
        ensures
            n == self.size(),
            forall|k: Seq<char>|
                self.view().contains_key(k) <==> exists|i: int| 0 <= i < n && #[trigger] self.address_at(i) == k,
    {
        proof {
            assert forall|k: Seq<char>|
                self.view().contains_key(k) <==> exists|i: int|
                    0 <= i < self.addresses.len() && #[trigger] self.address_at(i) == k by {
                if self.view().contains_key(k) {
                    let i = choose|i: int| 0 <= i < self.addresses.len() && self.addresses@[i]@ == k;
                    assert(self.address_at(i) == k);
                }
                if exists|i: int| 0 <= i < self.addresses.len() && #[trigger] self.address_at(i) == k {
                    let i = choose|i: int| 0 <= i < self.addresses.len() && #[trigger] self.address_at(i) == k;
                    assert(self.addresses@[i]@ == k);
                }
            }
        }
        self.addresses.len()
    }

    /// The address at position `i` and its balance.
    pub fn entry(&self, i: usize) -> (entry: (&String, i64))
        requires
            i < self.size(),
        ensures
            entry.0@ == self.address_at(i as int),
            self.view().contains_key(entry.0@),
            self.view()[entry.0@] == entry.1,
    {
        proof {
            use_type_invariant(self);
            self.lemma_at(i as int);
        }
        (&self.addresses[i], self.amounts[i])
    }
}

} // verus!
