//! Counts kept by name.

use vstd::prelude::*;

verus! {

/// A table of counts, each under a name. A name occurs at most once.
#[derive(Debug, Clone)]
pub struct NameCounts {
    names: Vec<String>,
    counts: Vec<u64>,
}

/// The position of `name` among the first `n` names, or `n` if it is not
/// there.
pub open spec fn position_of(names: Seq<String>, name: Seq<char>, n: nat) -> nat
    decreases n,
{
    if n == 0 {
        0
    } else {
        let before = position_of(names, name, (n - 1) as nat);
        if before < n - 1 {
            before
        } else if names[n - 1]@ == name {
            (n - 1) as nat
        } else {
            n
        }
    }
}

/// The sum of the first `n` counts.
pub open spec fn sum_of(counts: Seq<u64>, n: nat) -> nat
    decreases n,
{
    if n == 0 {
        0
    } else {
        sum_of(counts, (n - 1) as nat) + counts[n - 1] as nat
    }
}

proof fn lemma_position_of(names: Seq<String>, name: Seq<char>, n: nat)
    requires
        n <= names.len(),
    ensures
        position_of(names, name, n) <= n,
        position_of(names, name, n) < n ==> names[position_of(names, name, n) as int]@ == name,
        forall|i: int| 0 <= i < position_of(names, name, n) ==> (#[trigger] names[i])@ != name,
    decreases n,
{
    if n > 0 {
        lemma_position_of(names, name, (n - 1) as nat);
    }
}

proof fn lemma_sum_of_update(counts: Seq<u64>, i: int, value: u64, n: nat)
    requires
        0 <= i < counts.len(),
        n <= counts.len(),
    ensures
        sum_of(counts.update(i, value), n) == if i < n {
            sum_of(counts, n) - counts[i] + value
        } else {
            sum_of(counts, n) as int
        },
        i < n ==> sum_of(counts, n) >= counts[i],
    decreases n,
{
    if n > 0 {
        lemma_sum_of_update(counts, i, value, (n - 1) as nat);
    }
}

proof fn lemma_sum_of_push(counts: Seq<u64>, value: u64, n: nat)
    requires
        n <= counts.len(),
    ensures
        sum_of(counts.push(value), n) == sum_of(counts, n),
    decreases n,
{
    if n > 0 {
        lemma_sum_of_push(counts, value, (n - 1) as nat);
    }
}

proof fn lemma_sum_of_bound(counts: Seq<u64>, n: nat)
    requires
        n <= counts.len(),
    ensures
        sum_of(counts, n) <= n * u64::MAX,
    decreases n,
{
    if n > 0 {
        lemma_sum_of_bound(counts, (n - 1) as nat);
        assert((n - 1) * u64::MAX + u64::MAX == n * u64::MAX) by (nonlinear_arith);
    }
}

proof fn lemma_count_in_sum(counts: Seq<u64>, i: int, n: nat)
    requires
        0 <= i < n <= counts.len(),
    ensures
        counts[i] <= sum_of(counts, n),
    decreases n,
{
    if n - 1 > i {
        lemma_count_in_sum(counts, i, (n - 1) as nat);
    }
}

impl NameCounts {
    /// No count is more than the sum of all counts.
    pub proof fn lemma_count_at_most_total(&self, name: Seq<char>)
        requires
            self.wf(),
        ensures
            self.count(name) <= self.total(),
    {
        let at = position_of(self.names(), name, self.names().len());
        if at < self.names().len() {
            lemma_count_in_sum(self.counts(), at as int, self.counts().len());
        }
    }

    /// The names of the table, in the order in which they were first counted.
    pub closed spec fn names(&self) -> Seq<String> {
        self.names@
    }

    /// The counts of the table, each at the position of its name.
    pub closed spec fn counts(&self) -> Seq<u64> {
        self.counts@
    }

    /// Each name has a count, and no name occurs twice.
    pub open spec fn wf(&self) -> bool {
        &&& self.names().len() == self.counts().len()
        &&& forall|i: int, j: int|
            0 <= i < j < self.names().len() ==> (#[trigger] self.names()[i])@ != (
            #[trigger] self.names()[j])@
    }

    /// Whether the table holds `name`.
    pub open spec fn contains(&self, name: Seq<char>) -> bool {
        position_of(self.names(), name, self.names().len()) < self.names().len()
    }

    /// The count kept under `name`: zero, if the table does not hold it.
    pub open spec fn count(&self, name: Seq<char>) -> nat {
        let at = position_of(self.names(), name, self.names().len());
        if at < self.names().len() {
            self.counts()[at as int] as nat
        } else {
            0
        }
    }

    /// The sum of all counts.
    pub open spec fn total(&self) -> nat {
        sum_of(self.counts(), self.counts().len())
    }

    /// Makes an empty table.
    pub fn new() -> (table: NameCounts)
        ensures
            table.wf(),
            table.names().len() == 0,
            table.total() == 0,
            forall|name: Seq<char>| !(#[trigger] table.contains(name)),
            forall|name: Seq<char>| #[trigger] table.count(name) == 0,
    {
        NameCounts { names: Vec::new(), counts: Vec::new() }
    }

    /// Returns the number of names in the table.
    pub fn len(&self) -> (n: usize)
        requires
            self.wf(),
        ensures
            n == self.names().len(),
    {
        self.names.len()
    }

    /// Returns the name at position `i`.
    pub fn name_at(&self, i: usize) -> (name: &String)
        requires
            self.wf(),
            i < self.names().len(),
        ensures
            *name == self.names()[i as int],
    {
        &self.names[i]
    }

    /// Returns the count at position `i`.
    pub fn count_at(&self, i: usize) -> (count: u64)
        requires
            self.wf(),
            i < self.names().len(),
        ensures
            count == self.counts()[i as int],
            count == self.count(self.names()[i as int]@),
    {
        proof {
            lemma_position_of(self.names(), self.names()[i as int]@, self.names().len());
        }
        self.counts[i]
    }

    fn find(&self, name: &String) -> (at: usize)
        requires
            self.wf(),
        ensures
            at == position_of(self.names(), name@, self.names().len()),
            at <= self.names().len(),
    {
        let n = self.names.len();
        let mut i: usize = 0;
        while i < n
            invariant
                n == self.names@.len(),
                i <= n,
                position_of(self.names@, name@, i as nat) == i,
            decreases n - i,
        {
            if self.names[i] == *name {
                proof {
                    lemma_position_found(self.names@, name@, i as nat, n as nat);
                }
                return i;
            }
            i += 1;
        }
        n
    }

    /// Returns the count kept under `name`: zero, if the table does not hold
    /// it.
    pub fn get(&self, name: &str) -> (count: u64)
        requires
            self.wf(),
        ensures
            count == self.count(name@),
    {
        let key = String::from_str(name);
        let at = self.find(&key);
        if at < self.counts.len() {
            self.counts[at]
        } else {
            0
        }
    }

    /// Adds `amount` to the count kept under `name`, which enters the table if
    /// it is new.
    pub fn add(&mut self, name: &str, amount: u64)
        requires
            old(self).wf(),
            old(self).count(name@) + amount <= u64::MAX,
        ensures
            final(self).wf(),
            final(self).contains(name@),
            final(self).count(name@) == old(self).count(name@) + amount,
            final(self).total() == old(self).total() + amount,
            forall|other: Seq<char>|
                other != name@ ==> #[trigger] final(self).count(other) == old(self).count(other),
            forall|other: Seq<char>|
                other != name@ ==> #[trigger] final(self).contains(other) == old(self).contains(
                    other,
                ),
            old(self).contains(name@) ==> final(self).names() == old(self).names(),
            !old(self).contains(name@) ==> final(self).names().len() == old(self).names().len() + 1
                && final(self).names().drop_last() == old(self).names() && final(self).names().last()@ == name@,
    {
        let key = String::from_str(name);
        let at = self.find(&key);
        let ghost old_names = self.names@;
        let ghost old_counts = self.counts@;
        proof {
            lemma_position_of(old_names, name@, old_names.len());
        }
        if at < self.counts.len() {
            let updated: u64 = self.counts[at] + amount;
            self.counts.set(at, updated);
            proof {
                lemma_sum_of_update(old_counts, at as int, updated, old_counts.len());
                assert forall|other: Seq<char>| other != name@ implies #[trigger] self.count(other)
                    == old(self).count(other) by {
                    lemma_position_of(old_names, other, old_names.len());
                }
            }
        } else {
            self.names.push(key);
            self.counts.push(amount);
            proof {
                assert(self.names@.drop_last() =~= old_names);
                lemma_sum_of_push(old_counts, amount, old_counts.len());
                lemma_position_pushed(old_names, key, name@, old_names.len());
                assert forall|other: Seq<char>| other != name@ implies position_of(
                    self.names@,
                    other,
                    self.names@.len(),
                ) == if position_of(old_names, other, old_names.len()) < old_names.len() {
                    position_of(old_names, other, old_names.len())
                } else {
                    self.names@.len()
                } by {
                    lemma_position_pushed(old_names, key, other, old_names.len());
                }
                assert forall|other: Seq<char>| other != name@ implies #[trigger] self.count(other)
                    == old(self).count(other) by {
                    lemma_position_pushed(old_names, key, other, old_names.len());
                    lemma_position_of(old_names, other, old_names.len());
                }
            }
        }
    }

    /// Returns the sum of all counts.
    pub fn sum(&self) -> (sum: u128)
        requires
            self.wf(),
        ensures
            sum == self.total(),
    {
        let n = self.counts.len();
        let mut sum: u128 = 0;
        let mut i: usize = 0;
        while i < n
            invariant
                n == self.counts@.len(),
                i <= n,
                sum == sum_of(self.counts@, i as nat),
            decreases n - i,
        {
            proof {
                lemma_sum_of_bound(self.counts@, (i + 1) as nat);
                assert((i + 1) * u64::MAX <= usize::MAX * u64::MAX) by (nonlinear_arith)
                    requires
                        i + 1 <= usize::MAX,
                ;
            }
            sum = sum + self.counts[i] as u128;
            i += 1;
        }
        sum
    }
}

proof fn lemma_position_found(names: Seq<String>, name: Seq<char>, i: nat, n: nat)
    requires
        i < n <= names.len(),
        position_of(names, name, i) == i,
        names[i as int]@ == name,
    ensures
        position_of(names, name, n) == i,
    decreases n,
{
    if n > i + 1 {
        lemma_position_found(names, name, i, (n - 1) as nat);
    }
}

proof fn lemma_position_pushed(names: Seq<String>, added: String, name: Seq<char>, n: nat)
    requires
        n <= names.len(),
    ensures
        position_of(names.push(added), name, n) == position_of(names, name, n),
        n == names.len() ==> position_of(names.push(added), name, n + 1) == if position_of(
            names,
            name,
            n,
        ) < n {
            position_of(names, name, n)
        } else if added@ == name {
            n
        } else {
            n + 1
        },
    decreases n,
{
    if n > 0 {
        lemma_position_pushed(names, added, name, (n - 1) as nat);
    }
    lemma_position_of(names, name, n);
}

} // verus!
