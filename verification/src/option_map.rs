//! The options of a message: option numbers in ascending order, each with
//! the values that were given for it, in the order in which they came.

use vstd::prelude::*;

verus! {

/// What a list of option values holds, as plain byte strings.
pub open spec fn values_view(values: Vec<Vec<u8>>) -> Seq<Seq<u8>> {
    Seq::new(values@.len(), |j: int| values@[j]@)
}

/// Whether the option numbers of `entries` strictly ascend.
pub open spec fn ascending(entries: Seq<(u16, Seq<Seq<u8>>)>) -> bool {
    forall|i: int, j: int| 0 <= i < j < entries.len() ==> entries[i].0 < entries[j].0
}

/// The number of leading entries whose option number is below `number`: in
/// ascending entries, the place where `number` stands or would stand.
pub open spec fn rank(entries: Seq<(u16, Seq<Seq<u8>>)>, number: u16) -> int
    decreases entries.len(),
{
    if entries.len() == 0 || entries[0].0 >= number {
        0
    } else {
        1 + rank(entries.drop_first(), number)
    }
}

/// Whether `entries` has an entry for `number`.
pub open spec fn has_entry(entries: Seq<(u16, Seq<Seq<u8>>)>, number: u16) -> bool {
    rank(entries, number) < entries.len() && entries[rank(entries, number)].0 == number
}

/// The values recorded for `number`, if it has an entry.
pub open spec fn lookup(entries: Seq<(u16, Seq<Seq<u8>>)>, number: u16) -> Option<Seq<Seq<u8>>> {
    if has_entry(entries, number) {
        Some(entries[rank(entries, number)].1)
    } else {
        None
    }
}

/// `entries` with the values of `number` replaced by `values`, in a new entry
/// where it had none.
pub open spec fn with_set(
    entries: Seq<(u16, Seq<Seq<u8>>)>,
    number: u16,
    values: Seq<Seq<u8>>,
) -> Seq<(u16, Seq<Seq<u8>>)> {
    if has_entry(entries, number) {
        entries.update(rank(entries, number), (number, values))
    } else {
        entries.insert(rank(entries, number), (number, values))
    }
}

/// `entries` with `value` appended to the values of `number`.
pub open spec fn with_added(
    entries: Seq<(u16, Seq<Seq<u8>>)>,
    number: u16,
    value: Seq<u8>,
) -> Seq<(u16, Seq<Seq<u8>>)> {
    match lookup(entries, number) {
        Some(values) => with_set(entries, number, values.push(value)),
        None => with_set(entries, number, seq![value]),
    }
}

/// `entries` with the values of `number` emptied; its entry, if any, stays.
pub open spec fn with_cleared(entries: Seq<(u16, Seq<Seq<u8>>)>, number: u16) -> Seq<
    (u16, Seq<Seq<u8>>),
> {
    if has_entry(entries, number) {
        with_set(entries, number, Seq::empty())
    } else {
        entries
    }
}

/// The place of `number` is the first index at which the numbers are no
/// longer below it.
pub proof fn lemma_rank_is(entries: Seq<(u16, Seq<Seq<u8>>)>, number: u16, k: int)
    requires
        0 <= k <= entries.len(),
        forall|i: int| 0 <= i < k ==> entries[i].0 < number,
        k < entries.len() ==> entries[k].0 >= number,
    ensures
        rank(entries, number) == k,
    decreases entries.len(),
{
    if k > 0 {
        let rest = entries.drop_first();
        assert forall|i: int| 0 <= i < k - 1 implies rest[i].0 < number by {
            assert(rest[i] == entries[i + 1]);
        }
        lemma_rank_is(rest, number, k - 1);
    }
}

/// In ascending entries everything before the place of `number` is below it
/// and everything from that place on is not.
pub proof fn lemma_rank_bounds(entries: Seq<(u16, Seq<Seq<u8>>)>, number: u16)
    requires
        ascending(entries),
    ensures
        0 <= rank(entries, number) <= entries.len(),
        forall|i: int| 0 <= i < rank(entries, number) ==> entries[i].0 < number,
        forall|i: int| rank(entries, number) <= i < entries.len() ==> entries[i].0 >= number,
    decreases entries.len(),
{
    if entries.len() > 0 && entries[0].0 < number {
        let rest = entries.drop_first();
        assert(ascending(rest)) by {
            assert forall|i: int, j: int| 0 <= i < j < rest.len() implies rest[i].0 < rest[j].0 by {
                assert(rest[i] == entries[i + 1]);
                assert(rest[j] == entries[j + 1]);
            }
        }
        lemma_rank_bounds(rest, number);
        assert forall|i: int| 0 <= i < rank(entries, number) implies entries[i].0 < number by {
            if i > 0 {
                assert(rest[i - 1] == entries[i]);
            }
        }
        assert forall|i: int| rank(entries, number) <= i < entries.len() implies entries[i].0
            >= number by {
            assert(rest[i - 1] == entries[i]);
        }
    } else if entries.len() > 0 {
        assert forall|i: int| 0 <= i < entries.len() implies entries[i].0 >= number by {
            if i > 0 {
                assert(entries[0].0 < entries[i].0);
            }
        }
    }
}

/// Setting the values of an option keeps the numbers ascending, and the
/// option is then found with those values; the other options are found as
/// before.
pub proof fn lemma_with_set(
    entries: Seq<(u16, Seq<Seq<u8>>)>,
    number: u16,
    values: Seq<Seq<u8>>,
    other: u16,
)
    requires
        ascending(entries),
    ensures
        ascending(with_set(entries, number, values)),
        lookup(with_set(entries, number, values), number) == Some(values),
        other != number ==> lookup(with_set(entries, number, values), other) == lookup(
            entries,
            other,
        ),
{
    lemma_rank_bounds(entries, number);
    lemma_rank_bounds(entries, other);
    let k = rank(entries, number);
    let after = with_set(entries, number, values);
    assert(ascending(after));
    lemma_rank_is(after, number, k);
    if other != number {
        let ko = rank(entries, other);
        if has_entry(entries, number) {
            lemma_rank_is(after, other, ko);
        } else if ko <= k {
            if ko < k {
                lemma_rank_is(after, other, ko);
            } else {
                lemma_rank_is(after, other, if other < number { ko } else { ko + 1 });
            }
        } else {
            lemma_rank_is(after, other, ko + 1);
        }
    }
}

/// The options of a message.
#[derive(Debug, PartialEq)]
pub struct OptionMap {
    entries: Vec<(u16, Vec<Vec<u8>>)>,
}

impl OptionMap {
    #[verifier::type_invariant]
    spec fn well_formed(self) -> bool {
        ascending(self.entries_view())
    }

    spec fn entries_view(self) -> Seq<(u16, Seq<Seq<u8>>)> {
        Seq::new(self.entries@.len(), |i: int| (self.entries@[i].0, values_view(self.entries@[i].1)))
    }

    /// The entries: option numbers with their values, numbers ascending.
    pub closed spec fn view(self) -> Seq<(u16, Seq<Seq<u8>>)> {
        self.entries_view()
    }

    /// Creates an empty set of options.
    pub fn new() -> (m: OptionMap)
        ensures
            m@ == Seq::<(u16, Seq<Seq<u8>>)>::empty(),
    {
        let m = OptionMap { entries: Vec::new() };
        assert(m@ =~= Seq::<(u16, Seq<Seq<u8>>)>::empty());
        m
    }

    /// The number of entries, emptied ones included. Their numbers always
    /// ascend.
    pub fn len(&self) -> (n: usize)
        ensures
            n == self@.len(),
            ascending(self@),
    {
        proof {
            use_type_invariant(self);
        }
        self.entries.len()
    }

    /// The option number of the entry at `index`.
    pub fn number_at(&self, index: usize) -> (number: u16)
        requires
            index < self@.len(),
        ensures
            number == self@[index as int].0,
    {
        self.entries[index].0
    }

    /// The values of the entry at `index`.
    pub fn values_at(&self, index: usize) -> (values: &Vec<Vec<u8>>)
        requires
            index < self@.len(),
        ensures
            values_view(*values) == self@[index as int].1,
    {
        &self.entries[index].1
    }

    /// The place where `number` stands or would stand.
    fn find(&self, number: u16) -> (k: usize)
        ensures
            k == rank(self@, number),
            k <= self@.len(),
    {
        proof {
            use_type_invariant(self);
        }
        let mut k: usize = 0;
        while k < self.entries.len() && self.entries[k].0 < number
            invariant
                k <= self.entries@.len(),
                forall|i: int| 0 <= i < k ==> self@[i].0 < number,
            decreases self.entries@.len() - k,
        {
            k = k + 1;
        }
        proof {
            lemma_rank_is(self@, number, k as int);
        }
        k
    }

    /// The values recorded for `number`, if it has an entry.
    pub fn get(&self, number: u16) -> (r: Option<&Vec<Vec<u8>>>)
        ensures
            match r {
                Some(values) => lookup(self@, number) == Some(values_view(*values)),
                None => lookup(self@, number) is None,
            },
    {
        let k = self.find(number);
        if k < self.entries.len() && self.entries[k].0 == number {
            Some(&self.entries[k].1)
        } else {
            None
        }
    }

    /// Replaces the values of `number` by `values`.
    pub fn set(&mut self, number: u16, values: Vec<Vec<u8>>)
        ensures
            final(self)@ == with_set(old(self)@, number, values_view(values)),
    {
        proof {
            use_type_invariant(&*self);
            lemma_with_set(self@, number, values_view(values), number);
        }
        let k = self.find(number);
        let ghost before = self@;
        let mut entries: Vec<(u16, Vec<Vec<u8>>)> = Vec::new();
        core::mem::swap(&mut entries, &mut self.entries);
        if k < entries.len() && entries[k].0 == number {
            entries[k] = (number, values);
        } else {
            entries.insert(k, (number, values));
        }
        let ghost after = Seq::new(
            entries@.len(),
            |i: int| (entries@[i].0, values_view(entries@[i].1)),
        );
        assert(after =~= with_set(before, number, values_view(values)));
        self.entries = entries;
    }

    /// Appends `value` to the values of `number`.
    pub fn add(&mut self, number: u16, value: Vec<u8>)
        ensures
            final(self)@ == with_added(old(self)@, number, value@),
    {
        proof {
            use_type_invariant(&*self);
        }
        let k = self.find(number);
        let ghost before = self@;
        let mut entries: Vec<(u16, Vec<Vec<u8>>)> = Vec::new();
        core::mem::swap(&mut entries, &mut self.entries);
        if k < entries.len() && entries[k].0 == number {
            proof {
                lemma_with_set(before, number, before[k as int].1.push(value@), number);
            }
            entries[k].1.push(value);
            assert(values_view(entries@[k as int].1) =~= before[k as int].1.push(value@));
        } else {
            proof {
                lemma_with_set(before, number, seq![value@], number);
            }
            let mut values: Vec<Vec<u8>> = Vec::new();
            values.push(value);
            assert(values_view(values) =~= seq![value@]);
            entries.insert(k, (number, values));
        }
        let ghost after = Seq::new(
            entries@.len(),
            |i: int| (entries@[i].0, values_view(entries@[i].1)),
        );
        assert(after =~= with_added(before, number, value@));
        self.entries = entries;
    }

    /// Empties the values of `number`; its entry, if any, stays.
    pub fn clear(&mut self, number: u16)
        ensures
            final(self)@ == with_cleared(old(self)@, number),
    {
        proof {
            use_type_invariant(&*self);
            lemma_with_set(self@, number, Seq::empty(), number);
        }
        let k = self.find(number);
        let ghost before = self@;
        let mut entries: Vec<(u16, Vec<Vec<u8>>)> = Vec::new();
        core::mem::swap(&mut entries, &mut self.entries);
        if k < entries.len() && entries[k].0 == number {
            entries[k].1.clear();
            assert(values_view(entries@[k as int].1) =~= Seq::<Seq<u8>>::empty());
        }
        let ghost after = Seq::new(
            entries@.len(),
            |i: int| (entries@[i].0, values_view(entries@[i].1)),
        );
        assert(after =~= with_cleared(before, number));
        self.entries = entries;
    }

    /// Removes every entry.
    pub fn clear_all(&mut self)
        ensures
            final(self)@ == Seq::<(u16, Seq<Seq<u8>>)>::empty(),
    {
        self.entries = Vec::new();
        assert(self@ =~= Seq::<(u16, Seq<Seq<u8>>)>::empty());
    }
}

/// A copy of a list of option values.
pub fn clone_values(values: &Vec<Vec<u8>>) -> (copy: Vec<Vec<u8>>)
    ensures
        values_view(copy) == values_view(*values),
{
    let mut copy: Vec<Vec<u8>> = Vec::new();
    let mut j: usize = 0;
    while j < values.len()
        invariant
            j <= values@.len(),
            copy@.len() == j,
            forall|i: int| 0 <= i < j ==> copy@[i]@ == values@[i]@,
        decreases values@.len() - j,
    {
        copy.push(values[j].clone());
        j = j + 1;
    }
    assert(values_view(copy) =~= values_view(*values));
    copy
}

impl Clone for OptionMap {
    fn clone(&self) -> (copy: OptionMap)
        ensures
            copy@ == self@,
    {
        let mut entries: Vec<(u16, Vec<Vec<u8>>)> = Vec::new();
        let mut i: usize = 0;
        while i < self.entries.len()
            invariant
                i <= self.entries@.len(),
                entries@.len() == i,
                forall|j: int|
                    0 <= j < i ==> entries@[j].0 == self.entries@[j].0 && values_view(
                        entries@[j].1,
                    ) == values_view(self.entries@[j].1),
            decreases self.entries@.len() - i,
        {
            entries.push((self.entries[i].0, clone_values(&self.entries[i].1)));
            i = i + 1;
        }
        proof {
            use_type_invariant(self);
        }
        let ghost after = Seq::new(
            entries@.len(),
            |i: int| (entries@[i].0, values_view(entries@[i].1)),
        );
        assert(after =~= self@);
        OptionMap { entries }
    }
}

} // verus!
